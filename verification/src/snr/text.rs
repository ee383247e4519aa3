//! Zero-terminated UTF-8 strings of the script.
use vstd::prelude::*;
use vstd::string::StringSliceAdditionalSpecFns;
use vstd::utf8::valid_utf8;

use std::str::Utf8Error;

verus! {

/// The bytes without their trailing zero bytes.
pub open spec fn strip_trailing_zeros(s: Seq<u8>) -> Seq<u8>
    decreases s.len(),
{
    if s.len() > 0 && s.last() == 0 {
        strip_trailing_zeros(s.drop_last())
    } else {
        s
    }
}

#[verifier::external_type_specification]
#[verifier::external_body]
pub struct ExUtf8Error(std::str::Utf8Error);

/// Why bytes are no UTF-8 string; the error of `std::str::from_utf8` is kept for its message.
pub struct InvalidUtf8(pub Utf8Error);

/// `std::str::from_utf8`: succeeds exactly on valid UTF-8, with a string over the same bytes.
#[verifier::external_body]
fn str_from_utf8(v: &[u8]) -> (r: Result<&str, Utf8Error>)
    ensures
        match r {
            Ok(s) => valid_utf8(v@) && s.spec_bytes() == v@,
            Err(_) => !valid_utf8(v@),
        },
{
    std::str::from_utf8(v)
}

/// The UTF-8 string stored in `s`, without its trailing zero bytes.
pub fn decode_utf8_zstring(s: &[u8]) -> (r: Result<&str, InvalidUtf8>)
    ensures
        match r {
            Ok(t) => valid_utf8(strip_trailing_zeros(s@)) && t.spec_bytes() == strip_trailing_zeros(s@),
            Err(_) => !valid_utf8(strip_trailing_zeros(s@)),
        },
{
    let mut end = s.len();
    assert(s@.take(end as int) =~= s@);
    while end > 0 && s[end - 1] == 0
        invariant
            end <= s@.len(),
            strip_trailing_zeros(s@) == strip_trailing_zeros(s@.take(end as int)),
        decreases end,
    {
        assert(s@.take(end as int).drop_last() =~= s@.take(end - 1));
        end = end - 1;
    }
    let trimmed = vstd::slice::slice_subrange(s, 0, end);
    proof {
        assert(trimmed@ =~= s@.take(end as int));
    }
    match str_from_utf8(trimmed) {
        Ok(t) => Ok(t),
        Err(e) => Err(InvalidUtf8(e)),
    }
}

/// The bytes of `s` followed by a zero byte.
pub fn encode_utf8_zstring(s: &str) -> (r: Vec<u8>)
    ensures
        r@ == s.spec_bytes().push(0),
{
    let bytes = s.as_bytes();
    let capacity = if bytes.len() < usize::MAX {
        bytes.len() + 1
    } else {
        bytes.len()
    };
    let mut output: Vec<u8> = Vec::with_capacity(capacity);
    let mut i: usize = 0;
    while i < bytes.len()
        invariant
            i <= bytes@.len(),
            output@ == bytes@.take(i as int),
        decreases bytes@.len() - i,
    {
        output.push(bytes[i]);
        i = i + 1;
        assert(output@ =~= bytes@.take(i as int));
    }
    output.push(0);
    assert(output@ =~= s.spec_bytes().push(0));
    output
}

} // verus!
