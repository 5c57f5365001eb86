//! Places in texts, counted in bytes of their UTF-8 encoding.
use vstd::prelude::*;
use vstd::utf8::{char_is_scalar, encode_scalar, encode_utf8};

verus! {

broadcast use vstd::string::group_string_axioms;

/// The bytes before character `i` of a text.
pub open spec fn byte_offset(s: Seq<char>, i: int) -> int {
    encode_utf8(s.take(i)).len() as int
}

/// A character starts at byte `b`, or the text ends there.
pub open spec fn is_boundary(s: Seq<char>, b: int) -> bool {
    exists|i: int| 0 <= i <= s.len() && #[trigger] byte_offset(s, i) == b
}

/// The number of characters before byte `b`.
pub open spec fn char_at(s: Seq<char>, b: int) -> int {
    choose|i: int| 0 <= i <= s.len() && #[trigger] byte_offset(s, i) == b
}

/// The part of a text between two places that are counted in bytes.
pub open spec fn byte_slice(s: Seq<char>, a: int, b: int) -> Seq<char> {
    s.subrange(char_at(s, a), char_at(s, b))
}

proof fn encoding_of_push(s: Seq<char>, c: char)
    ensures
        encode_utf8(s.push(c)) == encode_utf8(s) + encode_scalar(c as u32),
    decreases s.len(),
{
    let t = s.push(c);
    if s.len() == 0 {
        assert(t.drop_first() =~= Seq::empty());
        assert(encode_utf8(Seq::<char>::empty()) =~= Seq::empty());
        assert(encode_utf8(t) =~= encode_utf8(s) + encode_scalar(c as u32));
    } else {
        assert(t.drop_first() =~= s.drop_first().push(c));
        encoding_of_push(s.drop_first(), c);
        assert(encode_utf8(t) =~= encode_utf8(s) + encode_scalar(c as u32));
    }
}

/// Each character takes one to four bytes.
pub proof fn offset_step(s: Seq<char>, i: int)
    requires
        0 <= i < s.len(),
    ensures
        byte_offset(s, i + 1) == byte_offset(s, i) + encode_scalar(s[i] as u32).len(),
        1 <= encode_scalar(s[i] as u32).len() <= 4,
{
    assert(s.take(i + 1) =~= s.take(i).push(s[i]));
    encoding_of_push(s.take(i), s[i]);
}

/// A later place lies at least as many bytes further on as there are characters in between.
pub proof fn offset_grows(s: Seq<char>, i: int, j: int)
    requires
        0 <= i <= j <= s.len(),
    ensures
        byte_offset(s, i) + (j - i) <= byte_offset(s, j),
    decreases j - i,
{
    if i < j {
        offset_grows(s, i, j - 1);
        offset_step(s, j - 1);
    }
}

/// The bytes before the start and before the end of a text.
pub proof fn offset_ends(s: Seq<char>)
    ensures
        byte_offset(s, 0) == 0,
        byte_offset(s, s.len() as int) == encode_utf8(s).len(),
{
    assert(s.take(0) =~= Seq::empty());
    assert(s.take(s.len() as int) =~= s);
}

/// Counting bytes up to a character and characters up to that byte leads back to it.
pub proof fn offset_leads_back(s: Seq<char>, i: int)
    requires
        0 <= i <= s.len(),
    ensures
        is_boundary(s, byte_offset(s, i)),
        char_at(s, byte_offset(s, i)) == i,
{
    let b = byte_offset(s, i);
    assert(is_boundary(s, b));
    let j = char_at(s, b);
    assert(0 <= j <= s.len() && byte_offset(s, j) == b);
    if i < j {
        offset_grows(s, i, j);
    } else if j < i {
        offset_grows(s, j, i);
    }
}

/// Places keep their order, whether they are counted in bytes or in characters.
pub proof fn places_keep_order(s: Seq<char>, a: int, b: int)
    requires
        is_boundary(s, a),
        is_boundary(s, b),
        a <= b,
    ensures
        0 <= char_at(s, a) <= char_at(s, b) <= s.len(),
{
    let i = char_at(s, a);
    let j = char_at(s, b);
    assert(0 <= i <= s.len() && byte_offset(s, i) == a);
    assert(0 <= j <= s.len() && byte_offset(s, j) == b);
    if j < i {
        offset_grows(s, j, i);
    }
}

/// The bytes of a text.
pub fn byte_count(text: &str) -> (r: usize)
    ensures
        r == encode_utf8(text@).len(),
{
    text.as_bytes().len()
}

fn char_width(c: char) -> (w: usize)
    ensures
        w == encode_scalar(c as u32).len(),
        1 <= w <= 4,
{
    proof {
        char_is_scalar(c);
    }
    let u: u32 = c as u32;
    if u <= 0x7f {
        1
    } else if u <= 0x7ff {
        2
    } else if u <= 0xffff {
        3
    } else {
        4
    }
}

/// The bytes before character `i` of a text.
pub fn offset_of(s: &[char], i: usize) -> (r: usize)
    requires
        i <= s@.len(),
        encode_utf8(s@).len() <= usize::MAX,
    ensures
        r == byte_offset(s@, i as int),
{
    let mut r: usize = 0;
    let mut k: usize = 0;
    proof {
        offset_ends(s@);
    }
    while k < i
        invariant
            k <= i <= s@.len(),
            r == byte_offset(s@, k as int),
            byte_offset(s@, s@.len() as int) <= usize::MAX,
        decreases i - k,
    {
        proof {
            offset_step(s@, k as int);
            offset_grows(s@, k + 1, s@.len() as int);
        }
        r = r + char_width(s[k]);
        k += 1;
    }
    r
}

/// The number of characters before byte `b`, where a character starts there or the text ends.
pub fn place_of_byte(s: &[char], b: usize) -> (r: Option<usize>)
    ensures
        match r {
            Some(i) => i <= s@.len() && is_boundary(s@, b as int) && char_at(s@, b as int) == i
                && byte_offset(s@, i as int) == b,
            None => !is_boundary(s@, b as int),
        },
{
    let n: usize = s.len();
    let mut left: usize = b;
    let mut i: usize = 0;
    proof {
        offset_ends(s@);
    }
    loop
        invariant
            i <= n == s@.len(),
            left + byte_offset(s@, i as int) == b,
        decreases n - i,
    {
        if left == 0 {
            proof {
                offset_leads_back(s@, i as int);
            }
            return Some(i);
        }
        if i == n {
            proof {
                assert forall|k: int| 0 <= k <= s@.len() implies #[trigger] byte_offset(s@, k)
                    != b by {
                    offset_grows(s@, k, s@.len() as int);
                }
            }
            return None;
        }
        let w: usize = char_width(s[i]);
        proof {
            offset_step(s@, i as int);
        }
        if left < w {
            proof {
                assert forall|k: int| 0 <= k <= s@.len() implies #[trigger] byte_offset(s@, k)
                    != b by {
                    if k <= i {
                        offset_grows(s@, k, i as int);
                    } else {
                        offset_grows(s@, i + 1, k);
                    }
                }
            }
            return None;
        }
        left = left - w;
        i += 1;
    }
}

} // verus!
