//! Text primitives over sequences of characters.
//!
//! Every function here is total. Strings are read as the sequence of their characters, and the
//! mathematical counterpart of each operation is a spec function of the same shape.
use vstd::prelude::*;
use vstd::string::*;

verus! {

broadcast use vstd::string::group_string_axioms;

// ---------------------------------------------------------------------------------------------
// Characters
// ---------------------------------------------------------------------------------------------
/// The characters with the Unicode `White_Space` property.
pub open spec fn is_space(c: char) -> bool {
    ||| 0x9 <= c as u32 <= 0xd
    ||| c as u32 == 0x20
    ||| c as u32 == 0x85
    ||| c as u32 == 0xa0
    ||| c as u32 == 0x1680
    ||| 0x2000 <= c as u32 <= 0x200a
    ||| c as u32 == 0x2028
    ||| c as u32 == 0x2029
    ||| c as u32 == 0x202f
    ||| c as u32 == 0x205f
    ||| c as u32 == 0x3000
}

/// Tells whether `c` has the Unicode `White_Space` property.
pub fn char_is_space(c: char) -> (b: bool)
    ensures
        b == is_space(c),
{
    let u: u32 = c as u32;
    (0x9 <= u && u <= 0xd) || u == 0x20 || u == 0x85 || u == 0xa0 || u == 0x1680 || (0x2000 <= u
        && u <= 0x200a) || u == 0x2028 || u == 0x2029 || u == 0x202f || u == 0x205f || u == 0x3000
}

/// ASCII letters and digits.
pub open spec fn is_alphanumeric(c: char) -> bool {
    ||| 'a' <= c <= 'z'
    ||| 'A' <= c <= 'Z'
    ||| '0' <= c <= '9'
}

/// Tells whether `c` is an ASCII letter or digit.
pub fn char_is_alphanumeric(c: char) -> (b: bool)
    ensures
        b == is_alphanumeric(c),
{
    ('a' <= c && c <= 'z') || ('A' <= c && c <= 'Z') || ('0' <= c && c <= '9')
}

/// The ASCII lower-case form of a character; everything but `A`-`Z` is unchanged.
pub open spec fn lower_char(c: char) -> char {
    if 'A' <= c <= 'Z' {
        (c as u32 + 32) as char
    } else {
        c
    }
}

/// Lowers one ASCII character.
pub fn char_lower(c: char) -> (r: char)
    ensures
        r == lower_char(c),
{
    if 'A' <= c && c <= 'Z' {
        let b: u8 = (c as u8) + 32;
        b as char
    } else {
        c
    }
}

/// What separates two pieces of a text.
#[derive(Clone, Copy, PartialEq, Eq, Structural)]
pub enum Breaks {
    /// White space.
    Space,
    /// Everything that is not an ASCII letter or digit.
    NonAlphanumeric,
}

/// Whether `c` ends a piece under `breaks`.
pub open spec fn is_break(breaks: Breaks, c: char) -> bool {
    match breaks {
        Breaks::Space => is_space(c),
        Breaks::NonAlphanumeric => !is_alphanumeric(c),
    }
}

// ---------------------------------------------------------------------------------------------
// Conversions
// ---------------------------------------------------------------------------------------------
/// The characters of a string.
pub fn chars_of(s: &str) -> (out: Vec<char>)
    ensures
        out@ == s@,
{
    let mut out: Vec<char> = Vec::new();
    for c in it: s.chars()
        invariant
            it.seq() == s@,
            out@ == s@.take(it.index() as int),
    {
        proof {
            assert(s@.take(it.index() as int + 1) =~= s@.take(it.index() as int).push(c));
        }
        out.push(c);
    }
    proof {
        assert(s@.take(s@.len() as int) =~= s@);
    }
    out
}

/// `String::push`: appends one character to the end of the string and changes nothing else.
#[verifier::external_body]
pub(crate) fn push_char(s: &mut String, c: char)
    ensures
        final(s)@ == old(s)@.push(c),
{
    s.push(c)
}

/// The string made of the given characters.
pub fn text_of(chars: &[char]) -> (out: String)
    ensures
        out@ == chars@,
{
    let mut out = String::new();
    let mut i: usize = 0;
    while i < chars.len()
        invariant
            i <= chars@.len(),
            out@ == chars@.take(i as int),
        decreases chars@.len() - i,
    {
        proof {
            assert(chars@.take(i + 1) =~= chars@.take(i as int).push(chars@[i as int]));
        }
        push_char(&mut out, chars[i]);
        i += 1;
    }
    proof {
        assert(chars@.take(chars@.len() as int) =~= chars@);
    }
    out
}

/// Tells whether two strings hold the same characters.
pub fn same(a: &str, b: &str) -> (r: bool)
    ensures
        r == (a@ == b@),
{
    a.to_owned() == b.to_owned()
}

/// The text `a` followed by the text `b`.
pub fn concat(a: &str, b: &str) -> (r: String)
    ensures
        r@ == a@ + b@,
{
    let mut out = a.to_owned();
    out.append(b);
    out
}

/// The views of a sequence of strings.
pub open spec fn texts(v: Seq<String>) -> Seq<Seq<char>> {
    Seq::new(v.len(), |i: int| v[i]@)
}

// ---------------------------------------------------------------------------------------------
// Trimming and case
// ---------------------------------------------------------------------------------------------
/// The text without the white space at its two ends.
pub open spec fn trim(s: Seq<char>) -> Seq<char>
    decreases s.len(),
{
    if s.len() > 0 && is_space(s[0]) {
        trim(s.drop_first())
    } else if s.len() > 0 && is_space(s.last()) {
        trim(s.drop_last())
    } else {
        s
    }
}

/// The characters of `s` without the white space at its two ends.
pub fn trim_chars(s: &[char]) -> (out: Vec<char>)
    ensures
        out@ == trim(s@),
{
    let mut a: usize = 0;
    proof {
        assert(s@.subrange(0, s@.len() as int) =~= s@);
    }
    while a < s.len() && char_is_space(s[a])
        invariant
            a <= s@.len(),
            trim(s@.subrange(a as int, s@.len() as int)) == trim(s@),
        decreases s@.len() - a,
    {
        proof {
            let rest = s@.subrange(a as int, s@.len() as int);
            assert(rest.drop_first() =~= s@.subrange(a + 1, s@.len() as int));
        }
        a += 1;
    }
    let mut b: usize = s.len();
    while b > a && char_is_space(s[b - 1])
        invariant
            a <= b <= s@.len(),
            a < b ==> !is_space(s@[a as int]),
            trim(s@.subrange(a as int, b as int)) == trim(s@),
        decreases b,
    {
        proof {
            let rest = s@.subrange(a as int, b as int);
            assert(rest.drop_last() =~= s@.subrange(a as int, b - 1));
        }
        b -= 1;
    }
    let out = slice_chars(s, a, b);
    proof {
        assert(trim(out@) == out@);
    }
    out
}

/// The characters of `s` from `a` up to `b`.
pub fn slice_chars(s: &[char], a: usize, b: usize) -> (out: Vec<char>)
    requires
        a <= b <= s@.len(),
    ensures
        out@ == s@.subrange(a as int, b as int),
{
    let mut out: Vec<char> = Vec::new();
    let mut i: usize = a;
    while i < b
        invariant
            a <= i <= b <= s@.len(),
            out@ == s@.subrange(a as int, i as int),
        decreases b - i,
    {
        proof {
            assert(s@.subrange(a as int, i + 1) =~= s@.subrange(a as int, i as int).push(
                s@[i as int],
            ));
        }
        out.push(s[i]);
        i += 1;
    }
    out
}

/// The ASCII lower-case form of a text.
pub open spec fn lower(s: Seq<char>) -> Seq<char> {
    Seq::new(s.len(), |i: int| lower_char(s[i]))
}

/// Lowers every ASCII letter.
pub fn lower_chars(s: &[char]) -> (out: Vec<char>)
    ensures
        out@ == lower(s@),
{
    let mut out: Vec<char> = Vec::new();
    let mut i: usize = 0;
    while i < s.len()
        invariant
            i <= s@.len(),
            out@ == lower(s@).take(i as int),
        decreases s@.len() - i,
    {
        out.push(char_lower(s[i]));
        i += 1;
    }
    proof {
        assert(lower(s@).take(s@.len() as int) =~= lower(s@));
    }
    out
}

/// The trimmed form of a string.
pub fn trimmed(s: &str) -> (r: String)
    ensures
        r@ == trim(s@),
{
    text_of(&trim_chars(&chars_of(s)))
}

/// The ASCII lower-case form of a string.
pub fn lowered(s: &str) -> (r: String)
    ensures
        r@ == lower(s@),
{
    text_of(&lower_chars(&chars_of(s)))
}

/// Whether nothing but white space occurs in `s`.
pub open spec fn is_blank(s: Seq<char>) -> bool {
    trim(s).len() == 0
}

/// Tells whether nothing but white space occurs in `s`.
pub fn blank(s: &str) -> (r: bool)
    ensures
        r == is_blank(s@),
{
    trim_chars(&chars_of(s)).len() == 0
}

/// A text is blank exactly when each of its characters is white space.
pub proof fn blank_means_all_space(s: Seq<char>)
    ensures
        is_blank(s) <==> (forall|i: int| 0 <= i < s.len() ==> is_space(#[trigger] s[i])),
    decreases s.len(),
{
    if s.len() > 0 {
        if is_space(s[0]) {
            blank_means_all_space(s.drop_first());
            assert forall|i: int| 0 <= i < s.len() && is_blank(s) implies is_space(
                #[trigger] s[i],
            ) by {
                if i > 0 {
                    assert(s.drop_first()[i - 1] == s[i]);
                }
            }
        } else if is_space(s.last()) {
            blank_means_all_space(s.drop_last());
            assert(s.drop_last()[0] == s[0]);
        }
    }
}

/// Trimming twice is trimming once.
pub proof fn trim_is_idempotent(s: Seq<char>)
    ensures
        trim(trim(s)) == trim(s),
    decreases s.len(),
{
    if s.len() > 0 && is_space(s[0]) {
        trim_is_idempotent(s.drop_first());
    } else if s.len() > 0 && is_space(s.last()) {
        trim_is_idempotent(s.drop_last());
    }
}

// ---------------------------------------------------------------------------------------------
// Pieces and joins
// ---------------------------------------------------------------------------------------------
/// The maximal runs of `s` without a break, in order.
pub open spec fn pieces(s: Seq<char>, breaks: Breaks) -> Seq<Seq<char>>
    decreases s.len(),
{
    if s.len() == 0 {
        Seq::empty()
    } else {
        let before = pieces(s.drop_last(), breaks);
        if is_break(breaks, s.last()) {
            before
        } else if s.len() == 1 || is_break(breaks, s[s.len() - 2]) {
            before.push(seq![s.last()])
        } else {
            before.drop_last().push(before.last().push(s.last()))
        }
    }
}

/// The words of `s`: its maximal runs without white space, in order.
pub open spec fn words(s: Seq<char>) -> Seq<Seq<char>> {
    pieces(s, Breaks::Space)
}

/// While the text does not end at a break, its last piece exists.
proof fn last_piece_exists(s: Seq<char>, breaks: Breaks)
    ensures
        s.len() > 0 && !is_break(breaks, s.last()) ==> pieces(s, breaks).len() > 0,
{
}

/// No piece is empty and none holds a break.
pub proof fn pieces_hold_no_break(s: Seq<char>, breaks: Breaks)
    ensures
        forall|k: int|
            0 <= k < pieces(s, breaks).len() ==> #[trigger] pieces(s, breaks)[k].len() > 0,
        forall|k: int, i: int|
            0 <= k < pieces(s, breaks).len() && 0 <= i < pieces(s, breaks)[k].len() ==> !is_break(
                breaks,
                #[trigger] pieces(s, breaks)[k][i],
            ),
    decreases s.len(),
{
    if s.len() > 0 {
        let before = pieces(s.drop_last(), breaks);
        let now = pieces(s, breaks);
        pieces_hold_no_break(s.drop_last(), breaks);
        last_piece_exists(s.drop_last(), breaks);
        assert(s.len() > 1 ==> s.drop_last().last() == s[s.len() - 2]);
        if is_break(breaks, s.last()) {
        } else if s.len() == 1 || is_break(breaks, s[s.len() - 2]) {
            assert(now == before.push(seq![s.last()]));
        } else {
            let n = before.len() - 1;
            assert(now == before.drop_last().push(before.last().push(s.last())));
            assert(now[n] == before[n].push(s.last()));
            assert forall|k: int, i: int|
                0 <= k < now.len() && 0 <= i < now[k].len() implies !is_break(
                breaks,
                #[trigger] now[k][i],
            ) by {
                if k < n {
                    assert(now[k] == before[k]);
                    assert(!is_break(breaks, before[k][i]));
                } else if i < before[n].len() {
                    assert(!is_break(breaks, before[n][i]));
                }
            }
        }
    }
}

/// The views of a sequence of character vectors.
pub open spec fn char_rows(v: Seq<Vec<char>>) -> Seq<Seq<char>> {
    Seq::new(v.len(), |i: int| v[i]@)
}

/// Splits a text into its pieces.
pub fn split_pieces(s: &[char], breaks: Breaks) -> (out: Vec<Vec<char>>)
    ensures
        char_rows(out@) == pieces(s@, breaks),
{
    let mut out: Vec<Vec<char>> = Vec::new();
    let mut i: usize = 0;
    while i < s.len()
        invariant
            i <= s@.len(),
            char_rows(out@) == pieces(s@.take(i as int), breaks),
        decreases s@.len() - i,
    {
        let c = s[i];
        let ghost before = s@.take(i as int);
        let ghost now = s@.take(i + 1);
        let ghost old_rows = char_rows(out@);
        proof {
            assert(now.drop_last() =~= before);
            assert(now.last() == c);
            assert(i > 0 ==> now[now.len() - 2] == s@[i - 1]);
            last_piece_exists(before, breaks);
            assert(i > 0 ==> before.last() == s@[i - 1]);
        }
        let ends = match breaks {
            Breaks::Space => char_is_space(c),
            Breaks::NonAlphanumeric => !char_is_alphanumeric(c),
        };
        if !ends {
            let fresh = if i == 0 {
                true
            } else {
                match breaks {
                    Breaks::Space => char_is_space(s[i - 1]),
                    Breaks::NonAlphanumeric => !char_is_alphanumeric(s[i - 1]),
                }
            };
            if fresh {
                let mut piece: Vec<char> = Vec::new();
                piece.push(c);
                out.push(piece);
                proof {
                    assert(char_rows(out@) =~= old_rows.push(seq![c]));
                }
            } else {
                let mut piece = match out.pop() {
                    Some(p) => p,
                    None => Vec::new(),
                };
                piece.push(c);
                out.push(piece);
                proof {
                    assert(char_rows(out@) =~= old_rows.drop_last().push(
                        old_rows.last().push(c),
                    ));
                }
            }
        }
        i += 1;
    }
    proof {
        assert(s@.take(s@.len() as int) =~= s@);
    }
    out
}

/// The words of a string, each as a string.
pub fn words_of(s: &str) -> (out: Vec<String>)
    ensures
        texts(out@) == words(s@),
{
    let rows = split_pieces(&chars_of(s), Breaks::Space);
    strings_of(&rows)
}

/// The strings made of the given rows of characters.
pub fn strings_of(rows: &Vec<Vec<char>>) -> (out: Vec<String>)
    ensures
        texts(out@) == char_rows(rows@),
{
    let mut out: Vec<String> = Vec::new();
    let mut i: usize = 0;
    while i < rows.len()
        invariant
            i <= rows@.len(),
            out@.len() == i,
            forall|k: int| 0 <= k < i ==> out@[k]@ == #[trigger] rows@[k]@,
        decreases rows@.len() - i,
    {
        out.push(text_of(&rows[i]));
        i += 1;
    }
    proof {
        assert(texts(out@) =~= char_rows(rows@));
    }
    out
}

/// The pieces with `sep` between each two neighbours.
pub open spec fn join(parts: Seq<Seq<char>>, sep: Seq<char>) -> Seq<char>
    decreases parts.len(),
{
    if parts.len() == 0 {
        Seq::empty()
    } else if parts.len() == 1 {
        parts[0]
    } else {
        join(parts.drop_last(), sep) + sep + parts.last()
    }
}

/// Joins strings with `sep` between each two neighbours.
pub fn join_strings(parts: &Vec<String>, sep: &str) -> (out: String)
    ensures
        out@ == join(texts(parts@), sep@),
{
    let mut out = String::new();
    let mut i: usize = 0;
    while i < parts.len()
        invariant
            i <= parts@.len(),
            out@ == join(texts(parts@).take(i as int), sep@),
        decreases parts@.len() - i,
    {
        proof {
            let now = texts(parts@).take(i + 1);
            assert(now.drop_last() =~= texts(parts@).take(i as int));
            assert(now.last() == parts@[i as int]@);
            assert(i == 0 ==> now.drop_last().len() == 0);
            assert(Seq::<char>::empty() + parts@[i as int]@ =~= parts@[i as int]@);
        }
        if i > 0 {
            out.append(sep);
        }
        out.append(parts[i].as_str());
        i += 1;
    }
    proof {
        assert(texts(parts@).take(parts@.len() as int) =~= texts(parts@));
    }
    out
}

/// The words of a text with one space between each two neighbours.
pub open spec fn normalize(s: Seq<char>) -> Seq<char> {
    join(words(s), seq![' '])
}

/// Collapses white space: the words of `value` joined by single spaces.
pub fn a11y_normalize_text(value: &str) -> (r: String)
    ensures
        r@ == normalize(value@),
{
    proof {
        reveal_strlit(" ");
        assert(" "@ =~= seq![' ']);
    }
    join_strings(&words_of(value), " ")
}

/// The parts of `s` between occurrences of `sep`; there is always at least one part.
pub open spec fn split_on(s: Seq<char>, sep: char) -> Seq<Seq<char>>
    decreases s.len(),
{
    if s.len() == 0 {
        seq![Seq::empty()]
    } else {
        let before = split_on(s.drop_last(), sep);
        if s.last() == sep {
            before.push(Seq::empty())
        } else {
            before.drop_last().push(before.last().push(s.last()))
        }
    }
}

/// A split has at least one part.
pub proof fn split_on_nonempty(s: Seq<char>, sep: char)
    ensures
        split_on(s, sep).len() > 0,
    decreases s.len(),
{
    if s.len() > 0 {
        split_on_nonempty(s.drop_last(), sep);
    }
}

/// Splits a text at each occurrence of `sep`.
pub fn split_chars(s: &[char], sep: char) -> (out: Vec<Vec<char>>)
    ensures
        char_rows(out@) == split_on(s@, sep),
        out@.len() > 0,
{
    let mut out: Vec<Vec<char>> = Vec::new();
    out.push(Vec::new());
    proof {
        assert(char_rows(out@) =~= seq![Seq::<char>::empty()]);
        assert(s@.take(0) =~= Seq::empty());
    }
    let mut i: usize = 0;
    while i < s.len()
        invariant
            i <= s@.len(),
            out@.len() > 0,
            char_rows(out@) == split_on(s@.take(i as int), sep),
        decreases s@.len() - i,
    {
        let c = s[i];
        let ghost old_rows = char_rows(out@);
        proof {
            assert(s@.take(i + 1).drop_last() =~= s@.take(i as int));
        }
        if c == sep {
            out.push(Vec::new());
            proof {
                assert(char_rows(out@) =~= old_rows.push(Seq::empty()));
            }
        } else {
            let mut piece = match out.pop() {
                Some(p) => p,
                None => Vec::new(),
            };
            piece.push(c);
            out.push(piece);
            proof {
                assert(char_rows(out@) =~= old_rows.drop_last().push(old_rows.last().push(c)));
            }
        }
        i += 1;
    }
    proof {
        assert(s@.take(s@.len() as int) =~= s@);
    }
    out
}

// ---------------------------------------------------------------------------------------------
// Searching
// ---------------------------------------------------------------------------------------------
/// Whether `needle` stands in `hay` at position `i`.
pub open spec fn stands_at(hay: Seq<char>, needle: Seq<char>, i: int) -> bool {
    &&& 0 <= i
    &&& i + needle.len() <= hay.len()
    &&& hay.subrange(i, i + needle.len()) == needle
}

/// Whether `needle` occurs in `hay`.
pub open spec fn contains(hay: Seq<char>, needle: Seq<char>) -> bool {
    exists|i: int| stands_at(hay, needle, i)
}

/// Tells whether `needle` stands in `hay` at position `at`.
pub fn chars_at(hay: &[char], needle: &[char], at: usize) -> (r: bool)
    requires
        at <= hay@.len(),
    ensures
        r == stands_at(hay@, needle@, at as int),
{
    let n: usize = hay.len();
    if n - at < needle.len() {
        return false;
    }
    let mut i: usize = 0;
    while i < needle.len()
        invariant
            i <= needle@.len(),
            n == hay@.len(),
            at + needle@.len() <= n,
            forall|k: int| 0 <= k < i ==> hay@[at + k] == #[trigger] needle@[k],
        decreases needle@.len() - i,
    {
        if hay[at + i] != needle[i] {
            proof {
                let window = hay@.subrange(at as int, at + needle@.len());
                assert(window[i as int] != needle@[i as int]);
            }
            return false;
        }
        i += 1;
    }
    proof {
        assert(hay@.subrange(at as int, at + needle@.len()) =~= needle@);
    }
    true
}

/// The first position from `from` on at which `needle` stands.
pub open spec fn is_first_at(hay: Seq<char>, needle: Seq<char>, from: int, i: int) -> bool {
    &&& from <= i
    &&& stands_at(hay, needle, i)
    &&& forall|k: int| from <= k < i ==> !#[trigger] stands_at(hay, needle, k)
}

/// Finds the first occurrence of `needle` at or after `from`.
pub fn find_chars(hay: &[char], needle: &[char], from: usize) -> (r: Option<usize>)
    requires
        from <= hay@.len(),
    ensures
        match r {
            Some(i) => is_first_at(hay@, needle@, from as int, i as int),
            None => forall|k: int| from <= k ==> !#[trigger] stands_at(hay@, needle@, k),
        },
{
    let mut i: usize = from;
    loop
        invariant
            from <= i <= hay@.len(),
            forall|k: int| from <= k < i ==> !#[trigger] stands_at(hay@, needle@, k),
        decreases hay@.len() - i,
    {
        if chars_at(hay, needle, i) {
            return Some(i);
        }
        if i == hay.len() {
            return None;
        }
        i += 1;
    }
}

/// Tells whether `needle` occurs in `hay`.
pub fn contains_text(hay: &str, needle: &str) -> (r: bool)
    ensures
        r == contains(hay@, needle@),
{
    let h = chars_of(hay);
    let n = chars_of(needle);
    match find_chars(&h, &n, 0) {
        Some(_) => true,
        None => {
            proof {
                assert forall|i: int| !stands_at(hay@, needle@, i) by {
                    if i >= 0 {
                        assert(!stands_at(h@, n@, i));
                    }
                }
            }
            false
        },
    }
}

// ---------------------------------------------------------------------------------------------
// Numbers
// ---------------------------------------------------------------------------------------------
/// Whether `c` is a decimal digit.
pub open spec fn is_digit(c: char) -> bool {
    '0' <= c <= '9'
}

/// Whether every character is a decimal digit.
pub open spec fn all_digits(s: Seq<char>) -> bool {
    forall|i: int| 0 <= i < s.len() ==> is_digit(#[trigger] s[i])
}

/// The number that a row of digits writes.
pub open spec fn digits_value(s: Seq<char>) -> int
    decreases s.len(),
{
    if s.len() == 0 {
        0
    } else {
        10 * digits_value(s.drop_last()) + (s.last() as u32 - '0' as u32)
    }
}

/// The integer that `s` writes: an optional sign and at least one digit, nothing else.
pub open spec fn written_int(s: Seq<char>) -> Option<int> {
    let signed = s.len() > 0 && (s[0] == '-' || s[0] == '+');
    let digits = if signed {
        s.drop_first()
    } else {
        s
    };
    if digits.len() == 0 || !all_digits(digits) {
        None
    } else if signed && s[0] == '-' {
        Some(-digits_value(digits))
    } else {
        Some(digits_value(digits))
    }
}

/// The integer that `s` writes, when it lies between the two bounds.
pub open spec fn parsed_int(s: Seq<char>, min: int, max: int) -> Option<int> {
    match written_int(s) {
        Some(n) => if min <= n <= max {
            Some(n)
        } else {
            None
        },
        None => None,
    }
}

proof fn digits_value_nonnegative(s: Seq<char>)
    requires
        all_digits(s),
    ensures
        0 <= digits_value(s),
    decreases s.len(),
{
    if s.len() > 0 {
        assert(is_digit(s[s.len() - 1]));
        assert(all_digits(s.drop_last())) by {
            assert forall|i: int| 0 <= i < s.drop_last().len() implies is_digit(
                #[trigger] s.drop_last()[i],
            ) by {
                assert(is_digit(s[i]));
            }
        }
        digits_value_nonnegative(s.drop_last());
    }
}

/// Reads a signed 64-bit integer, as `str::parse` does.
pub fn parse_i64(s: &[char]) -> (r: Option<i64>)
    ensures
        match r {
            Some(n) => parsed_int(s@, i64::MIN as int, i64::MAX as int) == Some(n as int),
            None => parsed_int(s@, i64::MIN as int, i64::MAX as int) is None,
        },
{
    if s.len() == 0 {
        return None;
    }
    let signed = s[0] == '-' || s[0] == '+';
    let start: usize = if signed {
        1
    } else {
        0
    };
    let ghost digits = s@.subrange(start as int, s@.len() as int);
    proof {
        assert(signed ==> digits =~= s@.drop_first());
        assert(!signed ==> digits =~= s@);
    }
    if start == s.len() {
        return None;
    }
    let negative = s[0] == '-';
    let mut value: i128 = 0;
    let mut over = false;
    let mut i: usize = start;
    while i < s.len()
        invariant
            start <= i <= s@.len(),
            digits == s@.subrange(start as int, s@.len() as int),
            digits.len() > 0,
            forall|k: int| 0 <= k < i - start ==> is_digit(#[trigger] digits[k]),
            0 <= value <= 0x8000_0000_0000_0000,
            !over ==> value == digits_value(digits.take(i - start)),
            over ==> digits_value(digits.take(i - start)) > 0x8000_0000_0000_0000,
            signed == (s@[0] == '-' || s@[0] == '+'),
            start == (if signed {
                1int
            } else {
                0int
            }),
            signed ==> digits == s@.drop_first(),
            !signed ==> digits == s@,
        decreases s@.len() - i,
    {
        let c = s[i];
        proof {
            assert(digits[i - start] == c);
            assert(digits.take(i - start + 1).drop_last() =~= digits.take(i - start));
            assert(digits.take(i - start + 1).last() == c);
        }
        if c < '0' || c > '9' {
            proof {
                assert(!is_digit(digits[i - start]));
                assert(!all_digits(digits));
            }
            return None;
        }
        let d: i128 = (c as u32 - '0' as u32) as i128;
        if !over {
            let next: i128 = value * 10 + d;
            if next > 0x8000_0000_0000_0000 {
                over = true;
            } else {
                value = next;
            }
        }
        i += 1;
    }
    proof {
        assert(digits.take(digits.len() as int) =~= digits);
        assert(all_digits(digits));
        digits_value_nonnegative(digits);
    }
    if over {
        return None;
    }
    if negative {
        let r: i128 = -value;
        Some(r as i64)
    } else if value == 0x8000_0000_0000_0000 {
        None
    } else {
        Some(value as i64)
    }
}

/// Reads a signed 32-bit integer, as `str::parse` does.
pub fn parse_i32(s: &[char]) -> (r: Option<i32>)
    ensures
        match r {
            Some(n) => parsed_int(s@, i32::MIN as int, i32::MAX as int) == Some(n as int),
            None => parsed_int(s@, i32::MIN as int, i32::MAX as int) is None,
        },
{
    match parse_i64(s) {
        Some(n) => if (i32::MIN as i64) <= n && n <= (i32::MAX as i64) {
            Some(n as i32)
        } else {
            None
        },
        None => None,
    }
}

/// The digit that writes `n`.
pub open spec fn digit_char(n: nat) -> char {
    ('0' as u32 + n) as char
}

/// The decimal notation of a natural number.
pub open spec fn decimal(n: nat) -> Seq<char>
    decreases n,
{
    if n < 10 {
        seq![digit_char(n)]
    } else {
        decimal(n / 10).push(digit_char(n % 10))
    }
}

/// Writes a number in decimal notation.
pub fn decimal_text(n: u64) -> (r: String)
    ensures
        r@ == decimal(n as nat),
    decreases n,
{
    let digit: u8 = (n % 10) as u8;
    let c: char = (48u8 + digit) as char;
    proof {
        assert('0' as u32 == 48);
        assert(c == digit_char((n % 10) as nat));
    }
    if n < 10 {
        let mut out = String::new();
        push_char(&mut out, c);
        proof {
            assert(out@ =~= seq![c]);
        }
        out
    } else {
        let mut out = decimal_text(n / 10);
        push_char(&mut out, c);
        out
    }
}

/// Writes a count in decimal notation.
pub fn count_text(n: usize) -> (r: String)
    ensures
        r@ == decimal(n as nat),
{
    decimal_text(n as u64)
}

/// The decimal notation of an integer, with a sign where it is negative.
pub open spec fn signed_decimal(n: int) -> Seq<char> {
    if n < 0 {
        seq!['-'] + decimal((-n) as nat)
    } else {
        decimal(n as nat)
    }
}

/// Writes an integer in decimal notation.
pub fn integer_text(n: i64) -> (r: String)
    ensures
        r@ == signed_decimal(n as int),
{
    if n < 0 {
        let size: i128 = -(n as i128);
        let mut out = String::new();
        push_char(&mut out, '-');
        proof {
            assert(out@ =~= seq!['-']);
        }
        out.append(&decimal_text(size as u64));
        out
    } else {
        decimal_text(n as u64)
    }
}

/// The decimal notation of a number reads back as that number.
pub proof fn decimal_reads_back(n: nat)
    ensures
        all_digits(decimal(n)),
        decimal(n).len() > 0,
        digits_value(decimal(n)) == n,
    decreases n,
{
    if n < 10 {
        assert(decimal(n).drop_last() =~= Seq::<char>::empty());
        assert(digits_value(Seq::<char>::empty()) == 0);
        assert(decimal(n).last() == digit_char(n));
    } else {
        decimal_reads_back(n / 10);
        let s = decimal(n);
        let prev = decimal(n / 10);
        assert(s.drop_last() =~= prev);
        assert(s.last() == digit_char(n % 10));
        assert forall|i: int| 0 <= i < s.len() implies is_digit(#[trigger] s[i]) by {
            if i < prev.len() {
                assert(is_digit(prev[i]));
            }
        }
    }
}

/// The notation of an integer reads back as that integer.
pub proof fn signed_decimal_reads_back(n: int)
    ensures
        written_int(signed_decimal(n)) == Some(n),
{
    if n < 0 {
        let digits = decimal((-n) as nat);
        decimal_reads_back((-n) as nat);
        assert(signed_decimal(n).drop_first() =~= digits);
    } else {
        let digits = decimal(n as nat);
        decimal_reads_back(n as nat);
        assert(is_digit(digits[0]));
    }
}

// ---------------------------------------------------------------------------------------------
// Laws
// ---------------------------------------------------------------------------------------------
/// The text `t` is what stands in `s` from `a` up to `b`, with nothing but white space around it and
/// none at its own ends.
pub open spec fn is_inner_text(s: Seq<char>, t: Seq<char>, a: int, b: int) -> bool {
    &&& 0 <= a <= b <= s.len()
    &&& t == s.subrange(a, b)
    &&& forall|i: int| 0 <= i < a || b <= i < s.len() ==> is_space(#[trigger] s[i])
    &&& t.len() > 0 ==> !is_space(t[0]) && !is_space(t[t.len() - 1])
}

proof fn inner_behind_space(s: Seq<char>, t: Seq<char>, a: int, b: int)
    requires
        s.len() > 0,
        is_space(s[0]),
        is_inner_text(s.drop_first(), t, a, b),
    ensures
        is_inner_text(s, t, a + 1, b + 1),
{
    let rest = s.drop_first();
    assert(rest.subrange(a, b) =~= s.subrange(a + 1, b + 1));
    assert forall|i: int| 0 <= i < a + 1 || b + 1 <= i < s.len() implies is_space(
        #[trigger] s[i],
    ) by {
        if i > 0 {
            assert(rest[i - 1] == s[i]);
        }
    }
}

proof fn inner_before_space(s: Seq<char>, t: Seq<char>, a: int, b: int)
    requires
        s.len() > 0,
        is_space(s.last()),
        is_inner_text(s.drop_last(), t, a, b),
    ensures
        is_inner_text(s, t, a, b),
{
    let rest = s.drop_last();
    assert(rest.subrange(a, b) =~= s.subrange(a, b));
    assert forall|i: int| 0 <= i < a || b <= i < s.len() implies is_space(#[trigger] s[i]) by {
        if i < s.len() - 1 {
            assert(rest[i] == s[i]);
        }
    }
}

/// Trimming leaves what stands between the white space at the two ends, and takes nothing else.
pub proof fn trimming_leaves_the_inner_text(s: Seq<char>) -> (r: (int, int))
    ensures
        is_inner_text(s, trim(s), r.0, r.1),
    decreases s.len(),
{
    if s.len() > 0 && is_space(s[0]) {
        let (a, b) = trimming_leaves_the_inner_text(s.drop_first());
        inner_behind_space(s, trim(s), a, b);
        (a + 1, b + 1)
    } else if s.len() > 0 && is_space(s.last()) {
        let (a, b) = trimming_leaves_the_inner_text(s.drop_last());
        inner_before_space(s, trim(s), a, b);
        (a, b)
    } else {
        assert(s.subrange(0, s.len() as int) =~= s);
        (0, s.len() as int)
    }
}

/// The text without its breaks.
pub open spec fn without_breaks(s: Seq<char>, breaks: Breaks) -> Seq<char>
    decreases s.len(),
{
    if s.len() == 0 {
        Seq::empty()
    } else if is_break(breaks, s.last()) {
        without_breaks(s.drop_last(), breaks)
    } else {
        without_breaks(s.drop_last(), breaks).push(s.last())
    }
}

/// How many characters start a piece: they are no break, and stand at the start or behind one.
pub open spec fn piece_starts(s: Seq<char>, breaks: Breaks) -> nat
    decreases s.len(),
{
    if s.len() == 0 {
        0
    } else {
        piece_starts(s.drop_last(), breaks) + if !is_break(breaks, s.last()) && (s.len() == 1
            || is_break(breaks, s[s.len() - 2])) {
            1nat
        } else {
            0nat
        }
    }
}

/// Pieces lose nothing but breaks: put together they are the text without its breaks, and there are
/// as many as there are places where one starts.
pub proof fn pieces_lose_nothing(s: Seq<char>, breaks: Breaks)
    ensures
        join(pieces(s, breaks), Seq::empty()) == without_breaks(s, breaks),
        pieces(s, breaks).len() == piece_starts(s, breaks),
    decreases s.len(),
{
    let none = Seq::<char>::empty();
    if s.len() > 0 {
        let head = s.drop_last();
        let before = pieces(head, breaks);
        let now = pieces(s, breaks);
        pieces_lose_nothing(head, breaks);
        last_piece_exists(head, breaks);
        assert(s.len() > 1 ==> head.last() == s[s.len() - 2]);
        if is_break(breaks, s.last()) {
        } else if s.len() == 1 || is_break(breaks, s[s.len() - 2]) {
            let one = seq![s.last()];
            assert(now.drop_last() =~= before);
            assert(now.last() == one);
            assert(join(now, none) =~= join(before, none) + one);
            assert(join(before, none) + one =~= join(before, none).push(s.last()));
        } else {
            let first = before.drop_last();
            let longer = before.last().push(s.last());
            assert(now.drop_last() =~= first);
            assert(now.last() == longer);
            assert(join(now, none) =~= join(first, none) + longer);
            assert(join(before, none) =~= join(first, none) + before.last());
            assert(join(now, none) =~= join(before, none).push(s.last()));
        }
    }
}

/// A split loses nothing: with the separator put back between its parts it is the text, and no part
/// holds the separator.
pub proof fn splits_lose_nothing(s: Seq<char>, sep: char)
    ensures
        join(split_on(s, sep), seq![sep]) == s,
        forall|k: int|
            0 <= k < split_on(s, sep).len() ==> !(#[trigger] split_on(s, sep)[k]).contains(sep),
    decreases s.len(),
{
    let mark = seq![sep];
    split_on_nonempty(s, sep);
    if s.len() > 0 {
        let head = s.drop_last();
        let before = split_on(head, sep);
        let now = split_on(s, sep);
        splits_lose_nothing(head, sep);
        split_on_nonempty(head, sep);
        if s.last() == sep {
            assert(now.drop_last() =~= before);
            assert(join(now, mark) =~= join(before, mark) + mark + Seq::empty());
            assert(join(before, mark) + mark + Seq::empty() =~= s);
            assert forall|k: int| 0 <= k < now.len() implies !(#[trigger] now[k]).contains(sep) by {
                if k < before.len() {
                    assert(now[k] == before[k]);
                }
            }
        } else {
            let first = before.drop_last();
            let longer = before.last().push(s.last());
            assert(now.drop_last() =~= first);
            assert(now.last() == longer);
            if before.len() == 1 {
                assert(join(now, mark) == longer);
                assert(longer =~= s);
            } else {
                assert(join(now, mark) =~= join(first, mark) + mark + longer);
                assert(join(before, mark) =~= join(first, mark) + mark + before.last());
                assert(join(first, mark) + mark + longer =~= (join(first, mark) + mark
                    + before.last()).push(s.last()));
                assert(head.push(s.last()) =~= s);
            }
            assert forall|k: int| 0 <= k < now.len() implies !(#[trigger] now[k]).contains(sep) by {
                if k < before.len() - 1 {
                    assert(now[k] == before[k]);
                } else if now[k].contains(sep) {
                    let j = choose|j: int| 0 <= j < longer.len() && longer[j] == sep;
                    assert(before.last()[j] == sep);
                    assert(before[before.len() - 1].contains(sep));
                }
            }
        }
    } else {
        assert(join(split_on(s, sep), mark) =~= s);
    }
}

/// Lower case changes the letters `A` to `Z` and nothing else, and leaves none of them.
pub proof fn lower_case_leaves_no_capital(s: Seq<char>, i: int)
    requires
        0 <= i < s.len(),
    ensures
        lower(s).len() == s.len(),
        !('A' <= s[i] <= 'Z') ==> lower(s)[i] == s[i],
        'A' <= s[i] <= 'Z' ==> lower(s)[i] as u32 == s[i] as u32 + 32,
        !('A' <= lower(s)[i] <= 'Z'),
        lower(lower(s)) == lower(s),
{
    assert(lower(lower(s)) =~= lower(s));
}

} // verus!
