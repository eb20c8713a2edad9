//! Identifiers made of random numbers.

use crate::text;
use vstd::prelude::*;

verus! {

/// A digit of a lower-case hexadecimal number.
pub open spec fn is_hex(c: char) -> bool {
    '0' <= c <= '9' || 'a' <= c <= 'f'
}

/// All characters are hexadecimal digits.
pub open spec fn all_hex(s: Seq<char>) -> bool {
    forall|i: int| 0 <= i < s.len() ==> is_hex(#[trigger] s[i])
}

/// The hyphenated form of a UUID: groups of 8, 4, 4, 4 and 12 hexadecimal digits.
pub open spec fn uuid_shape(s: Seq<char>) -> bool {
    &&& s.len() == 36
    &&& forall|i: int|
        0 <= i < 36 ==> if i == 8 || i == 13 || i == 18 || i == 23 {
            #[trigger] s[i] == '-'
        } else {
            is_hex(s[i])
        }
}

/// `s` without its hyphens.
pub open spec fn dehyphenated(s: Seq<char>) -> Seq<char>
    decreases s.len(),
{
    if s.len() == 0 {
        Seq::empty()
    } else if s.last() == '-' {
        dehyphenated(s.drop_last())
    } else {
        dehyphenated(s.drop_last()).push(s.last())
    }
}

/// Calls `uuid::Uuid::new_v4`, then `to_string`.
///
/// The number is random, so only the shape of its text is stated.
#[verifier::external_body]
fn random_uuid() -> (r: String)
    ensures
        uuid_shape(r@),
{
    uuid::Uuid::new_v4().to_string()
}

/// A new UUID, in its hyphenated form.
pub fn new_uuid() -> (r: String)
    ensures
        uuid_shape(r@),
{
    random_uuid()
}

/// `s` without its hyphens.
pub fn without_hyphens(s: &str) -> (r: String)
    ensures
        r@ == dehyphenated(s@),
{
    let chars = text::chars_of(s);
    let mut out = String::new();
    let mut i: usize = 0;
    assert(s@.take(0) =~= Seq::empty());
    while i < chars.len()
        invariant
            i <= chars.len(),
            chars@ == s@,
            out@ == dehyphenated(s@.take(i as int)),
        decreases chars.len() - i,
    {
        proof {
            assert(s@.take(i + 1).drop_last() =~= s@.take(i as int));
        }
        if chars[i] != '-' {
            let piece = text::slice(s, i, i + 1);
            out.append(piece.as_str());
            assert(out@ =~= dehyphenated(s@.take(i as int)).push(s@[i as int]));
        }
        i += 1;
    }
    assert(s@.take(chars.len() as int) =~= s@);
    out
}

/// The hyphens of a UUID are four; what is left are 32 hexadecimal digits.
pub proof fn lemma_dehyphenated_uuid(s: Seq<char>)
    requires
        uuid_shape(s),
    ensures
        dehyphenated(s).len() == 32,
        all_hex(dehyphenated(s)),
{
    lemma_dehyphenated_prefix(s, 36);
    assert(s.take(36) =~= s);
}

proof fn lemma_dehyphenated_prefix(s: Seq<char>, n: int)
    requires
        uuid_shape(s),
        0 <= n <= 36,
    ensures
        dehyphenated(s.take(n)).len() == n - (if n > 8 {
            1int
        } else {
            0
        }) - (if n > 13 {
            1int
        } else {
            0
        }) - (if n > 18 {
            1int
        } else {
            0
        }) - (if n > 23 {
            1int
        } else {
            0
        }),
        all_hex(dehyphenated(s.take(n))),
    decreases n,
{
    if n > 0 {
        lemma_dehyphenated_prefix(s, n - 1);
        assert(s.take(n).drop_last() =~= s.take(n - 1));
        assert(s.take(n).last() == s[n - 1]);
        assert(!is_hex('-'));
    }
}

/// `prefix` and `digits` hexadecimal digits.
pub open spec fn id_shape(s: Seq<char>, prefix: Seq<char>, digits: int) -> bool {
    &&& s.len() == prefix.len() + digits
    &&& s.take(prefix.len() as int) == prefix
    &&& all_hex(s.skip(prefix.len() as int))
}

/// A new id: `prefix` and the first `digits` digits of a random number.
pub fn new_id(prefix: &str, digits: usize) -> (r: String)
    requires
        digits <= 32,
    ensures
        id_shape(r@, prefix@, digits as int),
{
    let uuid = random_uuid();
    let bare = without_hyphens(uuid.as_str());
    proof {
        lemma_dehyphenated_uuid(uuid@);
    }
    let mut out = prefix.to_owned();
    let tail = text::slice(bare.as_str(), 0, digits);
    out.append(tail.as_str());
    proof {
        assert(out@.take(prefix@.len() as int) =~= prefix@);
        assert(out@.skip(prefix@.len() as int) =~= bare@.take(digits as int));
    }
    out
}

/// A new message id.
pub fn new_message_id() -> (r: String)
    ensures
        id_shape(r@, "msg_"@, 32),
{
    new_id("msg_", 32)
}

proof fn lemma_dehyphenated(s: Seq<char>)
    ensures
        dehyphenated(s) == s.filter(|c: char| c != '-'),
    decreases s.len(),
{
    reveal(Seq::filter);
    if s.len() > 0 {
        lemma_dehyphenated(s.drop_last());
    }
}

/// Taking the hyphens out of a text leaves all other characters, in their order.
pub proof fn law_only_hyphens_are_taken_out(s: &str, r: String)
    requires
        call_ensures(without_hyphens, (s,), r),
    ensures
        r@ == s@.filter(|c: char| c != '-'),
{
    lemma_dehyphenated(s@);
}

/// A new id begins with its prefix, and behind it has as many digits as were asked for, in lower
/// case.
pub proof fn law_new_id_has_its_prefix(prefix: &str, digits: usize, r: String, i: int)
    requires
        call_ensures(new_id, (prefix, digits), r),
        0 <= i < digits,
    ensures
        r@.len() == prefix@.len() + digits,
        r@.take(prefix@.len() as int) == prefix@,
        '0' <= r@[prefix@.len() + i] <= '9' || 'a' <= r@[prefix@.len() + i] <= 'f',
{
    assert(r@.skip(prefix@.len() as int)[i] == r@[prefix@.len() + i]);
}

} // verus!
