//! Broker topics: 32-byte, zero-padded names such as `shard:3`, which the
//! spatial service subscribes clients to and the broker maps back to shards.

use vstd::prelude::*;
use crate::decimal::{
    byte_codes, decimal_bytes, decimal_codes, is_digit_code, lemma_decimal_bytes_codes,
    lemma_decimal_codes, lemma_decimal_len_u32, law_parse_reads_printed_digits, parse_unsigned,
    parse_unsigned_bytes, push_decimal,
};

verus! {

/// The bytes of `shard:`.
pub open spec fn shard_prefix() -> Seq<u8> {
    seq![115u8, 104u8, 97u8, 114u8, 100u8, 58u8]
}

/// The text of the topic of a shard, `shard:` and the shard's number.
pub open spec fn shard_topic_text(shard_id: u32) -> Seq<u8> {
    shard_prefix() + decimal_bytes(shard_id as nat)
}

/// A name cut to 32 bytes and padded with zero bytes up to 32.
pub open spec fn pad_topic(s: Seq<u8>) -> Seq<u8> {
    Seq::new(32, |i: int| if i < s.len() { s[i] } else { 0u8 })
}

/// Index just past the zero bytes that start at `i`.
pub open spec fn leading_zeros_end(s: Seq<u8>, i: int) -> int
    decreases s.len() - i,
{
    if 0 <= i < s.len() && s[i] == 0 {
        leading_zeros_end(s, i + 1)
    } else {
        i
    }
}

/// Index where the zero bytes that end at `j` begin, not going below `lo`.
pub open spec fn trailing_zeros_start(s: Seq<u8>, lo: int, j: int) -> int
    decreases j - lo,
{
    if lo < j && s[j - 1] == 0 {
        trailing_zeros_start(s, lo, j - 1)
    } else {
        j
    }
}

/// The name without its leading and trailing zero bytes.
pub open spec fn trim_zero_bytes(s: Seq<u8>) -> Seq<u8> {
    let lo = leading_zeros_end(s, 0);
    s.subrange(lo, trailing_zeros_start(s, lo, s.len() as int))
}

/// The first index at or after `i` that holds `b`, or -1.
pub open spec fn first_index_of(s: Seq<u8>, b: u8, i: int) -> int
    decreases s.len() - i,
{
    if i < 0 || i >= s.len() {
        -1
    } else if s[i] == b {
        i
    } else {
        first_index_of(s, b, i + 1)
    }
}

/// The shard a topic names: the number after the first `:` of the topic
/// without its zero padding, or 0 when there is no `:` or what follows it is
/// not a 32-bit number. (Reading the topic as lossy UTF-8 text, trimming
/// NUL characters and splitting at `:` acts on the same ASCII bytes.)
pub open spec fn shard_id_of_topic(topic: Seq<u8>) -> u32 {
    let t = trim_zero_bytes(topic);
    let c = first_index_of(t, 58, 0);
    if c < 0 {
        0
    } else {
        match parse_unsigned(byte_codes(t.subrange(c + 1, t.len() as int)), u32::MAX as nat) {
            Some(v) => v as u32,
            None => 0,
        }
    }
}

/// The topic of a shard.
pub fn shard_topic(shard_id: u32) -> (topic: [u8; 32])
    ensures
        topic@ == pad_topic(shard_topic_text(shard_id)),
{
    let mut text: Vec<u8> = Vec::new();
    text.push(115u8);
    text.push(104u8);
    text.push(97u8);
    text.push(114u8);
    text.push(100u8);
    text.push(58u8);
    assert(text@ =~= shard_prefix());
    push_decimal(shard_id as u64, &mut text);
    let mut topic = [0u8; 32];
    let mut i: usize = 0;
    while i < 32
        invariant
            i <= 32,
            text@ == shard_topic_text(shard_id),
            forall|j: int| 0 <= j < i ==> topic@[j] == pad_topic(text@)[j],
            forall|j: int| i <= j < 32 ==> topic@[j] == 0u8,
        decreases 32 - i,
    {
        if i < text.len() {
            topic[i] = text[i];
        }
        i = i + 1;
    }
    assert(topic@ =~= pad_topic(shard_topic_text(shard_id)));
    topic
}

/// The shard that a topic names, as [`shard_id_of_topic`] says.
pub fn shard_id_from_topic(topic: &[u8; 32]) -> (id: u32)
    ensures
        id == shard_id_of_topic(topic@),
{
    let s = topic.as_slice();
    let ghost sv = topic@;
    assert(s@ == sv);
    let mut lo: usize = 0;
    while lo < 32 && s[lo] == 0
        invariant
            lo <= 32,
            s@ == sv,
            sv.len() == 32,
            leading_zeros_end(sv, 0) == leading_zeros_end(sv, lo as int),
        decreases 32 - lo,
    {
        lo = lo + 1;
    }
    let mut hi: usize = 32;
    while hi > lo && s[hi - 1] == 0
        invariant
            lo <= hi <= 32,
            s@ == sv,
            sv.len() == 32,
            leading_zeros_end(sv, 0) == lo,
            trailing_zeros_start(sv, lo as int, 32) == trailing_zeros_start(sv, lo as int, hi as int),
        decreases hi - lo,
    {
        hi = hi - 1;
    }
    let ghost t = trim_zero_bytes(sv);
    assert(t =~= sv.subrange(lo as int, hi as int));
    let mut k: usize = lo;
    while k < hi && s[k] != 58u8
        invariant
            lo <= k <= hi,
            hi <= 32,
            s@ == sv,
            sv.len() == 32,
            t == sv.subrange(lo as int, hi as int),
            first_index_of(t, 58, 0) == first_index_of(t, 58, k - lo),
        decreases hi - k,
    {
        k = k + 1;
    }
    if k == hi {
        return 0;
    }
    let digits = &s[k + 1..hi];
    assert(digits@ =~= t.subrange((k - lo) + 1, t.len() as int));
    match parse_unsigned_bytes(digits, 0xffff_ffffu64) {
        Some(v) => v as u32,
        None => 0,
    }
}

proof fn lemma_trailing_over_padding(p: Seq<u8>, n: int, j: int)
    requires
        1 <= n <= j <= p.len(),
        p[n - 1] != 0,
        forall|i: int| n <= i < p.len() ==> p[i] == 0,
    ensures
        trailing_zeros_start(p, 0, j) == n,
    decreases j - n,
{
    if j > n {
        lemma_trailing_over_padding(p, n, j - 1);
    }
}

/// The broker reads back from a shard's topic the shard it was made for.
pub proof fn law_shard_topic_roundtrip(shard_id: u32)
    ensures
        shard_id_of_topic(pad_topic(shard_topic_text(shard_id))) == shard_id,
{
    let d = decimal_bytes(shard_id as nat);
    let text = shard_topic_text(shard_id);
    let p = pad_topic(text);
    lemma_decimal_len_u32(shard_id);
    lemma_decimal_bytes_codes(shard_id as nat);
    lemma_decimal_codes(shard_id as nat);
    let n = text.len() as int;
    assert(n <= 16);
    assert(forall|i: int| 0 <= i < d.len() ==> 48 <= #[trigger] d[i] <= 57) by {
        assert forall|i: int| 0 <= i < d.len() implies 48 <= #[trigger] d[i] <= 57 by {
            assert(byte_codes(d)[i] == d[i] as int);
            assert(is_digit_code(decimal_codes(shard_id as nat)[i]));
        }
    }
    assert(text[n - 1] == d[d.len() - 1]);
    assert(p[n - 1] != 0);
    assert(p[0] == 115u8);
    assert(leading_zeros_end(p, 0) == 0);
    lemma_trailing_over_padding(p, n, 32);
    let t = trim_zero_bytes(p);
    assert(t =~= text);
    assert(first_index_of(t, 58, 5) == 5);
    assert(first_index_of(t, 58, 4) == 5);
    assert(first_index_of(t, 58, 3) == 5);
    assert(first_index_of(t, 58, 2) == 5);
    assert(first_index_of(t, 58, 1) == 5);
    assert(first_index_of(t, 58, 0) == 5);
    assert(t.subrange(6, t.len() as int) =~= d);
    law_parse_reads_printed_digits(shard_id as nat, u32::MAX as nat);
}

} // verus!
