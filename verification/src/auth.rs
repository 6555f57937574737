//! The bearer token: a shared secret that every request must carry.

use crate::text::{bytes_tell_texts_apart, chars_of, text_of};
use vstd::prelude::*;
use vstd::string::*;

verus! {

broadcast use vstd::string::group_string_axioms;

/// Whether a header carries the configured secret. Without a configured secret nothing
/// passes.
pub open spec fn admits(provided: Option<&str>, expected: Option<&str>) -> bool {
    match (provided, expected) {
        (Some(given), Some(wanted)) => wanted@.len() > 0 && given@ == wanted@,
        _ => false,
    }
}

/// Whether a request may pass. Fails closed: without a configured token nothing may.
///
/// Every byte is looked at, wherever the first difference lies.
pub fn bearer_ok(provided: Option<&str>, expected: Option<&str>) -> (ok: bool)
    ensures
        ok == admits(provided, expected),
        ok <==> provided is Some && expected is Some && expected->0@.len() > 0 && provided->0@
            == expected->0@,
{
    let (given, wanted) = match (provided, expected) {
        (Some(given), Some(wanted)) => (given, wanted),
        _ => {
            return false;
        },
    };
    proof {
        bytes_tell_texts_apart(given@, wanted@);
    }
    let a: &[u8] = given.as_bytes();
    let b: &[u8] = wanted.as_bytes();
    if wanted.is_empty() || a.len() != b.len() {
        return false;
    }
    let mut difference: u8 = 0;
    let mut i: usize = 0;
    while i < a.len()
        invariant
            i <= a@.len(),
            a@.len() == b@.len(),
            difference == 0 <==> a@.take(i as int) =~= b@.take(i as int),
        decreases a@.len() - i,
    {
        let x: u8 = a[i];
        let y: u8 = b[i];
        let seen: u8 = difference;
        assert((seen | (x ^ y)) == 0 <==> seen == 0 && x == y) by (bit_vector);
        difference = seen | (x ^ y);
        proof {
            let ta = a@.take(i as int);
            let tb = b@.take(i as int);
            assert(a@.take(i + 1) =~= ta.push(x));
            assert(b@.take(i + 1) =~= tb.push(y));
            if ta.push(x) =~= tb.push(y) {
                assert(ta =~= ta.push(x).drop_last());
                assert(tb =~= tb.push(y).drop_last());
                assert(ta.push(x).last() == tb.push(y).last());
            }
        }
        i += 1;
    }
    assert(a@.take(i as int) =~= a@);
    assert(b@.take(i as int) =~= b@);
    difference == 0
}

/// The token in an authorization header, if it is a bearer header.
pub open spec fn token_in(header: Seq<char>) -> Option<Seq<char>> {
    if header.len() >= 7 && header.take(7) == "Bearer "@ {
        Some(header.skip(7))
    } else {
        None
    }
}

/// The token in an authorization header. The word before it is required, and its case
/// counts.
pub fn bearer_token(header: &str) -> (token: Option<String>)
    ensures
        (match token {
            Some(t) => Some(t@),
            None => None,
        }) == token_in(header@),
        token matches Some(t) ==> header@ == "Bearer "@ + t@,
        token is None ==> forall|t: Seq<char>| header@ != #[trigger] ("Bearer "@ + t),
{
    let chars: Vec<char> = chars_of(header);
    let word: Vec<char> = chars_of("Bearer ");
    proof {
        reveal_strlit("Bearer ");
    }
    proof {
        assert forall|t: Seq<char>| header@ == #[trigger] ("Bearer "@ + t) implies header@.len() >= 7
            && header@.take(7) == "Bearer "@ by {
            assert(("Bearer "@ + t).take(7) =~= "Bearer "@);
        }
    }
    if chars.len() < 7 {
        return None;
    }
    let mut i: usize = 0;
    while i < 7
        invariant
            chars@ == header@,
            word@ == "Bearer "@,
            word@.len() == 7,
            chars@.len() >= 7,
            i <= 7,
            header@.take(i as int) == "Bearer "@.take(i as int),
        decreases 7 - i,
    {
        if chars[i] != word[i] {
            proof {
                if header@.take(7) == "Bearer "@ {
                    assert(header@.take(7)[i as int] == header@[i as int]);
                }
            }
            return None;
        }
        assert(header@.take(i + 1) =~= header@.take(i as int).push(chars@[i as int]));
        assert("Bearer "@.take(i + 1) =~= "Bearer "@.take(i as int).push(word@[i as int]));
        i += 1;
    }
    assert("Bearer "@.take(7) =~= "Bearer "@);
    let rest: String = text_of(&chars[7..chars.len()]);
    assert(rest@ =~= header@.skip(7));
    assert(header@ =~= header@.take(7) + header@.skip(7));
    Some(rest)
}

/// The secret lets a request pass, and nothing else does; without a secret nothing does.
pub proof fn bearer_fails_closed(given: &str)
    ensures
        !admits(Some(given), None),
        forall|expected: Option<&str>| !#[trigger] admits(None, expected),
        given@.len() > 0 ==> admits(Some(given), Some(given)),
{
}

/// A request passes exactly when it carries the secret that is configured, and none passes on an
/// empty one; the secret is what stands behind the word in its header.
pub proof fn only_the_secret_passes(provided: Option<&str>, expected: Option<&str>, token: Seq<char>)
    ensures
        admits(provided, expected) <==> provided is Some && expected is Some && expected->0@.len()
            > 0 && provided->0@ == expected->0@,
        token_in("Bearer "@ + token) == Some(token),
        token_in(token) matches Some(t) ==> token == "Bearer "@ + t,
{
    reveal_strlit("Bearer ");
    let header = "Bearer "@ + token;
    assert(header.take(7) =~= "Bearer "@);
    assert(header.skip(7) =~= token);
    if token_in(token) is Some {
        assert(token =~= token.take(7) + token.skip(7));
    }
}

} // verus!
