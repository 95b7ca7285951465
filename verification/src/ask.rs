use vstd::prelude::*;
use vstd::utf8::{encode_scalar, encode_utf8};
use crate::chars::{chars_of, string_of};
use crate::markdown::{append, slice_of};
use crate::textops::{trim, trimmed};

verus! {

/// The number of bytes of a text in UTF-8.
pub open spec fn utf8_len(s: Seq<char>) -> nat {
    encode_utf8(s).len()
}

/// Whether the first `k` characters of `t` take exactly the bytes that an
/// error message keeps when it is cut short.
pub open spec fn cuts_at(t: Seq<char>, k: int) -> bool {
    0 <= k <= t.len() && utf8_len(t.subrange(0, k)) == 180
}

/// An error message short enough to show: the trimmed detail, or, past 180
/// bytes, its first 180 bytes and "...".
pub open spec fn concise_error_text(detail: Seq<char>) -> Seq<char> {
    let t = trim(detail);
    if utf8_len(t) <= 180 {
        t
    } else {
        t.subrange(0, choose|k: int| cuts_at(t, k)) + "..."@
    }
}

proof fn lemma_utf8_len_push(s: Seq<char>, c: char)
    ensures
        utf8_len(s.push(c)) == utf8_len(s) + encode_scalar(c as u32).len(),
    decreases s.len(),
{
    if s.len() == 0 {
        assert(s.push(c).drop_first() =~= Seq::<char>::empty());
        assert(s.push(c)[0] == c);
        assert(encode_utf8(Seq::<char>::empty()).len() == 0);
        assert(encode_utf8(s.push(c)) == encode_scalar(c as u32) + encode_utf8(Seq::<char>::empty()));
        assert(encode_utf8(s).len() == 0);
    } else {
        lemma_utf8_len_push(s.drop_first(), c);
        assert(s.push(c).drop_first() =~= s.drop_first().push(c));
        assert(s.push(c)[0] == s[0]);
        assert(encode_utf8(s.push(c)) == encode_scalar(s[0] as u32) + encode_utf8(s.drop_first().push(c)));
        assert(encode_utf8(s) == encode_scalar(s[0] as u32) + encode_utf8(s.drop_first()));
    }
}

proof fn lemma_utf8_len_grows(t: Seq<char>, j: int, k: int)
    requires
        0 <= j < k <= t.len(),
    ensures
        utf8_len(t.subrange(0, j)) < utf8_len(t.subrange(0, k)),
    decreases k - j,
{
    broadcast use vstd::utf8::char_is_scalar;
    lemma_utf8_len_push(t.subrange(0, k - 1), t[k - 1]);
    assert(t.subrange(0, k - 1).push(t[k - 1]) =~= t.subrange(0, k));
    if j < k - 1 {
        lemma_utf8_len_grows(t, j, k - 1);
    }
}

fn utf8_width(c: char) -> (w: usize)
    ensures
        w == encode_scalar(c as u32).len(),
        1 <= w <= 4,
{
    broadcast use vstd::utf8::char_is_scalar;
    let v = c as u32;
    if v <= 0x7F {
        1
    } else if v <= 0x7FF {
        2
    } else if v <= 0xFFFF {
        3
    } else {
        4
    }
}

/// An error message short enough to show (see `concise_error_text`). The
/// 180th byte must end a character when the message is longer.
pub fn concise_error(detail: &str) -> (text: String)
    requires
        utf8_len(trim(detail@)) > 180 ==> exists|k: int| cuts_at(trim(detail@), k),
    ensures
        text@ == concise_error_text(detail@),
{
    let t = trimmed(&chars_of(detail));
    let ghost tv = t@;
    let mut k: usize = 0;
    let mut bytes: usize = 0;
    while k < t.len() && bytes < 180
        invariant
            k <= tv.len(),
            tv == t@,
            bytes == utf8_len(tv.subrange(0, k as int)),
            k > 0 ==> utf8_len(tv.subrange(0, k - 1)) < 180,
        decreases tv.len() - k,
    {
        proof {
            lemma_utf8_len_push(tv.subrange(0, k as int), tv[k as int]);
            assert(tv.subrange(0, k as int).push(tv[k as int]) =~= tv.subrange(0, k + 1));
        }
        bytes = bytes + utf8_width(t[k]);
        k = k + 1;
    }
    if k == t.len() && bytes <= 180 {
        assert(tv.subrange(0, tv.len() as int) =~= tv);
        return string_of(&t);
    }
    proof {
        if k < tv.len() {
            lemma_utf8_len_grows(tv, k as int, tv.len() as int);
        }
        assert(tv.subrange(0, tv.len() as int) =~= tv);
        assert(utf8_len(tv) > 180 || bytes > 180 || k < tv.len());
        assert(utf8_len(tv) >= bytes) by {
            if k < tv.len() {
                lemma_utf8_len_grows(tv, k as int, tv.len() as int);
            }
        }
    }
    if bytes != 180 {
        proof {
            assert(bytes > 180);
            let j = choose|j: int| cuts_at(tv, j);
            if j < k {
                if j < k - 1 {
                    lemma_utf8_len_grows(tv, j, k - 1);
                }
            } else if j > k {
                lemma_utf8_len_grows(tv, k as int, j);
            }
            assert(false);
        }
        return string_of(&t);
    }
    proof {
        let j = choose|j: int| cuts_at(tv, j);
        assert(cuts_at(tv, k as int));
        if j < k {
            lemma_utf8_len_grows(tv, j, k as int);
        } else if j > k {
            lemma_utf8_len_grows(tv, k as int, j);
        }
        assert(j == k);
        if utf8_len(tv) <= 180 {
            if k < tv.len() {
                lemma_utf8_len_grows(tv, k as int, tv.len() as int);
            }
        }
    }
    let mut out = slice_of(&t, 0, k);
    append(&mut out, &chars_of("..."));
    string_of(&out)
}

} // verus!
