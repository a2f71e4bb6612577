use vstd::prelude::*;
use vstd::utf8::{char_is_scalar, encode_scalar, encode_utf8};

verus! {

/// Number of bytes of `c` in UTF-8.
pub open spec fn char_len(c: char) -> int {
    encode_scalar(c as u32).len() as int
}

/// Byte offset, in the UTF-8 text, of the character at index `i` of `s`.
pub open spec fn byte_offset(s: Seq<char>, i: int) -> int {
    encode_utf8(s.subrange(0, i)).len() as int
}

/// Number of bytes of `s` in UTF-8.
pub open spec fn byte_len(s: Seq<char>) -> int {
    encode_utf8(s).len() as int
}

/// The characters among the first `n` of `s` whose first byte lies in
/// `[start, end)`.
pub open spec fn chars_in(s: Seq<char>, start: int, end: int, n: int) -> Seq<char>
    decreases n,
{
    if n <= 0 || n > s.len() {
        seq![]
    } else if start <= byte_offset(s, n - 1) < end {
        chars_in(s, start, end, n - 1).push(s[n - 1])
    } else {
        chars_in(s, start, end, n - 1)
    }
}

/// The characters of `s` whose first byte lies in `[start, end)`.
pub open spec fn text_in(s: Seq<char>, start: int, end: int) -> Seq<char> {
    chars_in(s, start, end, s.len() as int)
}

pub proof fn lemma_char_len(c: char)
    ensures
        1 <= char_len(c) <= 4,
        char_len(c) == 1 <==> (c as u32) <= 0x7F,
        char_len(c) == 2 <==> 0x80 <= (c as u32) <= 0x7FF,
        char_len(c) == 3 <==> 0x800 <= (c as u32) <= 0xFFFF,
        char_len(c) == 4 <==> 0x10000 <= (c as u32),
{
    char_is_scalar(c);
}

proof fn lemma_encode_push(a: Seq<char>, c: char)
    ensures
        encode_utf8(a.push(c)) == encode_utf8(a) + encode_scalar(c as u32),
    decreases a.len(),
{
    if a.len() == 0 {
        assert(a.push(c).drop_first() =~= Seq::<char>::empty());
        assert(a =~= Seq::<char>::empty());
        assert(encode_utf8(Seq::<char>::empty()) == Seq::<u8>::empty());
        assert(encode_utf8(a.push(c)) == encode_scalar(c as u32) + encode_utf8(Seq::<char>::empty()));
        assert(encode_utf8(a.push(c)) =~= encode_utf8(a) + encode_scalar(c as u32));
    } else {
        assert(a.push(c).drop_first() =~= a.drop_first().push(c));
        lemma_encode_push(a.drop_first(), c);
        assert(encode_utf8(a.push(c)) =~= encode_utf8(a) + encode_scalar(c as u32));
    }
}

/// Each character moves the byte offset on by its length.
pub proof fn lemma_byte_step(s: Seq<char>, i: int)
    requires
        0 <= i < s.len(),
    ensures
        byte_offset(s, i + 1) == byte_offset(s, i) + char_len(s[i]),
{
    assert(s.subrange(0, i + 1) =~= s.subrange(0, i).push(s[i]));
    lemma_encode_push(s.subrange(0, i), s[i]);
}

/// Byte offsets grow by at least one per character, up to the length.
pub proof fn lemma_byte_mono(s: Seq<char>, i: int, j: int)
    requires
        0 <= i <= j <= s.len(),
    ensures
        byte_offset(s, i) + (j - i) <= byte_offset(s, j) <= byte_len(s),
        byte_offset(s, 0) == 0,
    decreases s.len() - i,
{
    assert(s.subrange(0, 0) =~= Seq::<char>::empty());
    assert(s.subrange(0, s.len() as int) =~= s);
    if i < s.len() {
        lemma_byte_step(s, i);
        lemma_char_len(s[i]);
        if i < j {
            lemma_byte_mono(s, i + 1, j);
        } else {
            lemma_byte_mono(s, i + 1, s.len() as int);
        }
    }
}

/// The characters under the byte range of characters `i` to `j` are those
/// characters.
pub proof fn lemma_text_in(s: Seq<char>, i: int, j: int)
    requires
        0 <= i <= j <= s.len(),
    ensures
        text_in(s, byte_offset(s, i), byte_offset(s, j)) == s.subrange(i, j),
{
    lemma_chars_in(s, i, j, s.len() as int);
}

proof fn lemma_chars_in(s: Seq<char>, i: int, j: int, n: int)
    requires
        0 <= i <= j <= s.len(),
        0 <= n <= s.len(),
    ensures
        chars_in(s, byte_offset(s, i), byte_offset(s, j), n) == s.subrange(
            if i < n { i } else { n },
            if j < n { j } else { n },
        ),
    decreases n,
{
    if n > 0 {
        lemma_chars_in(s, i, j, n - 1);
        let k = n - 1;
        if k < i {
            lemma_byte_mono(s, k + 1, i);
            lemma_byte_step(s, k);
            lemma_char_len(s[k]);
        } else if k < j {
            lemma_byte_mono(s, i, k);
            lemma_byte_mono(s, k + 1, j);
            lemma_byte_step(s, k);
            lemma_char_len(s[k]);
            assert(s.subrange(i, k).push(s[k]) =~= s.subrange(i, k + 1));
        } else {
            lemma_byte_mono(s, j, k);
        }
    } else {
        assert(s.subrange(0, 0) =~= Seq::<char>::empty());
    }
}

/// Number of bytes of `c` in UTF-8.
pub fn char_len_exec(c: char) -> (r: usize)
    ensures
        r == char_len(c),
{
    proof {
        lemma_char_len(c);
    }
    let v = c as u32;
    if v <= 0x7F {
        1
    } else if v <= 0x7FF {
        2
    } else if v <= 0xFFFF {
        3
    } else {
        4
    }
}

/// The byte offset of character `j`, from that of character `i`.
pub fn bytes_until(s: &Vec<char>, i: usize, j: usize, b: usize) -> (r: usize)
    requires
        i <= j <= s.len(),
        b == byte_offset(s@, i as int),
        byte_len(s@) <= usize::MAX,
    ensures
        r == byte_offset(s@, j as int),
{
    let mut k = i;
    let mut r = b;
    while k < j
        invariant
            i <= k <= j <= s.len(),
            r == byte_offset(s@, k as int),
            byte_len(s@) <= usize::MAX,
        decreases j - k,
    {
        proof {
            lemma_byte_step(s@, k as int);
            lemma_byte_mono(s@, k + 1, s.len() as int);
        }
        r = r + char_len_exec(s[k]);
        k = k + 1;
    }
    r
}

} // verus!
