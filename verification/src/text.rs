//! Text produced by the library: decimal numbers and NUL-terminated byte names.

use vstd::prelude::*;
use vstd::string::StringExecFns;
use vstd::utf8::{decode_utf8, valid_utf8};

verus! {

/// The ASCII digit for `d`, which must be below ten.
pub open spec fn digit_char(d: nat) -> char {
    ((d + 48) as u8) as char
}

/// The decimal notation of `n`, without leading zeros (`0` is written `"0"`).
pub open spec fn decimal(n: nat) -> Seq<char>
    decreases n,
{
    if n < 10 {
        seq![digit_char(n)]
    } else {
        decimal(n / 10).push(digit_char(n % 10))
    }
}

/// The one-character text of the digit `d`.
fn digit_text(d: u32) -> (r: &'static str)
    requires
        d < 10,
    ensures
        r@ == seq![digit_char(d as nat)],
{
    proof {
        reveal_strlit("0");
        reveal_strlit("1");
        reveal_strlit("2");
        reveal_strlit("3");
        reveal_strlit("4");
        reveal_strlit("5");
        reveal_strlit("6");
        reveal_strlit("7");
        reveal_strlit("8");
        reveal_strlit("9");
    }
    let r = match d {
        0 => "0",
        1 => "1",
        2 => "2",
        3 => "3",
        4 => "4",
        5 => "5",
        6 => "6",
        7 => "7",
        8 => "8",
        _ => "9",
    };
    assert(r@ =~= seq![digit_char(d as nat)]);
    r
}

/// Appends the text of `t` to `s`.
pub(crate) fn push_str(s: &mut String, t: &str)
    ensures
        final(s)@ == old(s)@ + t@,
{
    s.append(t);
}

/// Appends the decimal notation of `n` to `s`.
pub fn push_decimal(s: &mut String, n: u32)
    ensures
        final(s)@ == old(s)@ + decimal(n as nat),
    decreases n,
{
    if n >= 10 {
        push_decimal(s, n / 10);
    }
    let d: u32 = n % 10;
    push_str(s, digit_text(d));
    assert(s@ =~= old(s)@ + decimal(n as nat)) by {
        if n >= 10 {
            assert(decimal(n as nat) == decimal((n / 10) as nat).push(digit_char((n % 10) as nat)));
        }
    }
}

/// The text that lossy UTF-8 decoding makes of `bytes`: the decoded text
/// where the bytes are valid UTF-8, with each invalid sequence replaced by
/// U+FFFD.
pub uninterp spec fn utf8_lossy(bytes: Seq<u8>) -> Seq<char>;

/// Decodes `bytes` as UTF-8, replacing each invalid sequence by U+FFFD
/// (`String::from_utf8_lossy`). Its result is named `utf8_lossy`; for valid
/// UTF-8 it is the decoded text, as the documentation of `from_utf8_lossy`
/// says. Which replacement characters an invalid input yields is not stated.
#[verifier::external_body]
fn decode_utf8_lossy(bytes: &[u8]) -> (r: String)
    ensures
        r@ == utf8_lossy(bytes@),
        valid_utf8(bytes@) ==> r@ == decode_utf8(bytes@),
{
    String::from_utf8_lossy(bytes).into_owned()
}

/// The bytes of `b` before its first NUL byte (all of `b` when it has none).
pub open spec fn before_nul(b: Seq<u8>) -> Seq<u8>
    decreases b.len(),
{
    if b.len() == 0 || b[0] == 0 {
        Seq::empty()
    } else {
        seq![b[0]] + before_nul(b.drop_first())
    }
}

/// The bytes before the first NUL of `b` are its first `end` bytes when none
/// of them is NUL and the byte at `end` is NUL or missing.
pub proof fn lemma_before_nul_at(b: Seq<u8>, end: int)
    requires
        0 <= end <= b.len(),
        forall|k: int| 0 <= k < end ==> b[k] != 0,
        end == b.len() || b[end] == 0,
    ensures
        before_nul(b) == b.subrange(0, end),
    decreases end,
{
    if end == 0 {
        assert(b.subrange(0, 0) =~= Seq::<u8>::empty());
    } else {
        let t = b.drop_first();
        assert forall|k: int| 0 <= k < end - 1 implies t[k] != 0 by {
            assert(t[k] == b[k + 1]);
        }
        assert(end - 1 == t.len() || t[end - 1] == b[end]);
        lemma_before_nul_at(t, end - 1);
        assert(b.subrange(0, end) =~= seq![b[0]] + t.subrange(0, end - 1));
    }
}

/// The text of a NUL-terminated byte string: the bytes before the first NUL,
/// decoded as lossy UTF-8.
pub open spec fn c_string_text(b: Seq<u8>) -> Seq<char> {
    utf8_lossy(before_nul(b))
}

/// The text of a NUL-terminated byte string (the whole of `bytes` when it
/// holds no NUL), decoded as lossy UTF-8.
pub fn bytes_to_string(bytes: &[u8]) -> (r: String)
    ensures
        r@ == c_string_text(bytes@),
        valid_utf8(before_nul(bytes@)) ==> r@ == decode_utf8(before_nul(bytes@)),
{
    let mut end: usize = 0;
    while end < bytes.len() && bytes[end] != 0
        invariant
            end <= bytes@.len(),
            forall|k: int| 0 <= k < end ==> bytes@[k] != 0,
        decreases bytes@.len() - end,
    {
        end = end + 1;
    }
    proof {
        lemma_before_nul_at(bytes@, end as int);
    }
    decode_utf8_lossy(&bytes[0..end])
}

} // verus!
